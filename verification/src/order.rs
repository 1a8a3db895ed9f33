//! Searching a row-major sequence of cells.

use vstd::prelude::*;
use crate::cell::{Cell, comes_before, precedes, row_major};

verus! {

/// `p` is the place of `c` in `s`: every cell in front of it precedes `c` and
/// no cell from it on does.
pub open spec fn is_place(s: Seq<Cell>, c: Cell, p: int) -> bool {
    &&& 0 <= p <= s.len()
    &&& forall|i: int| 0 <= i < p ==> precedes(#[trigger] s[i], c)
    &&& forall|i: int| p <= i < s.len() ==> !precedes(#[trigger] s[i], c)
}

/// Finds the place of `c` by bisection.
pub fn position(cells: &Vec<Cell>, c: Cell) -> (p: usize)
    requires
        row_major(cells@),
    ensures
        is_place(cells@, c, p as int),
{
    let mut lo: usize = 0;
    let mut hi: usize = cells.len();
    while lo < hi
        invariant
            row_major(cells@),
            lo <= hi <= cells.len(),
            forall|i: int| 0 <= i < lo ==> precedes(#[trigger] cells@[i], c),
            forall|i: int| hi <= i < cells.len() ==> !precedes(#[trigger] cells@[i], c),
        decreases hi - lo,
    {
        let mid: usize = lo + (hi - lo) / 2;
        if comes_before(cells[mid], c) {
            assert forall|i: int| 0 <= i < mid + 1 implies precedes(#[trigger] cells@[i], c) by {
                if i < mid {
                    assert(precedes(cells@[i], cells@[mid as int]));
                }
            }
            lo = mid + 1;
        } else {
            assert forall|i: int| mid <= i < cells.len() implies !precedes(
                #[trigger] cells@[i],
                c,
            ) by {
                if mid < i {
                    assert(precedes(cells@[mid as int], cells@[i]));
                }
            }
            hi = mid;
        }
    }
    lo
}

/// The cell at its place, if any, is the only occurrence of `c`.
pub proof fn lemma_place_found(s: Seq<Cell>, c: Cell, p: int)
    requires
        row_major(s),
        is_place(s, c, p),
    ensures
        s.contains(c) <==> (p < s.len() && s[p] == c),
        forall|i: int| 0 <= i < s.len() && s[i] == c ==> i == p,
{
    assert forall|i: int| 0 <= i < s.len() && s[i] == c implies i == p by {
        if i < p {
            assert(precedes(s[i], c));
        } else if i > p {
            assert(precedes(s[p], s[i]));
            assert(!precedes(s[p], c));
        }
    }
    if s.contains(c) {
        let i = choose|i: int| 0 <= i < s.len() && s[i] == c;
        assert(i == p);
    }
}

/// With `c` put at its place, the sequence stays row-major and gains `c` alone.
pub proof fn lemma_insert_at_place(s: Seq<Cell>, c: Cell, p: int)
    requires
        row_major(s),
        is_place(s, c, p),
        !s.contains(c),
    ensures
        row_major(s.insert(p, c)),
        s.insert(p, c).len() == s.len() + 1,
        s.insert(p, c)[p] == c,
        forall|i: int| 0 <= i < p ==> #[trigger] s.insert(p, c)[i] == s[i],
        forall|i: int| p <= i < s.len() ==> #[trigger] s.insert(p, c)[i + 1] == s[i],
        forall|x: Cell| #[trigger] s.insert(p, c).contains(x) <==> (x == c || s.contains(x)),
{
    let t = s.insert(p, c);
    s.insert_ensures(p, c);
    assert forall|i: int| p <= i < s.len() implies #[trigger] t[i + 1] == s[i] by {}
    assert forall|i: int, j: int| 0 <= i < j < t.len() implies precedes(
        #[trigger] t[i],
        #[trigger] t[j],
    ) by {
        if j < p {
            assert(precedes(s[i], s[j]));
        } else if j == p {
            assert(precedes(s[i], c));
        } else if i == p {
            assert(t[j] == s[j - 1]);
            assert(!precedes(s[j - 1], c));
            assert(s.contains(s[j - 1]));
        } else if i < p {
            assert(t[j] == s[j - 1]);
            assert(precedes(s[i], c));
            assert(!precedes(s[j - 1], c));
        } else {
            assert(t[i] == s[i - 1]);
            assert(t[j] == s[j - 1]);
            assert(precedes(s[i - 1], s[j - 1]));
        }
    }
    assert forall|x: Cell| #[trigger] t.contains(x) <==> (x == c || s.contains(x)) by {
        if t.contains(x) {
            let i = choose|i: int| 0 <= i < t.len() && t[i] == x;
            if i < p {
                assert(s[i] == x);
            } else if i > p {
                assert(t[i] == s[i - 1]);
            }
        }
        if x == c {
            assert(t[p] == x);
        }
        if s.contains(x) {
            let i = choose|i: int| 0 <= i < s.len() && s[i] == x;
            if i < p {
                assert(t[i] == x);
            } else {
                assert(t[i + 1] == x);
            }
        }
    }
}

/// With the cell at `p` taken out, the sequence stays row-major and loses that
/// cell alone.
pub proof fn lemma_remove_at(s: Seq<Cell>, p: int)
    requires
        row_major(s),
        0 <= p < s.len(),
    ensures
        row_major(s.remove(p)),
        s.remove(p).len() == s.len() - 1,
        forall|x: Cell| #[trigger] s.remove(p).contains(x) <==> (x != s[p] && s.contains(x)),
{
    let t = s.remove(p);
    s.remove_ensures(p);
    assert forall|i: int, j: int| 0 <= i < j < t.len() implies precedes(
        #[trigger] t[i],
        #[trigger] t[j],
    ) by {
        let a = if i < p { i } else { i + 1 };
        let b = if j < p { j } else { j + 1 };
        assert(t[i] == s[a]);
        assert(t[j] == s[b]);
        assert(precedes(s[a], s[b]));
    }
    assert forall|x: Cell| #[trigger] t.contains(x) <==> (x != s[p] && s.contains(x)) by {
        if t.contains(x) {
            let i = choose|i: int| 0 <= i < t.len() && t[i] == x;
            let a = if i < p { i } else { i + 1 };
            assert(t[i] == s[a]);
            if a < p {
                assert(precedes(s[a], s[p]));
            } else {
                assert(precedes(s[p], s[a]));
            }
        }
        if x != s[p] && s.contains(x) {
            let i = choose|i: int| 0 <= i < s.len() && s[i] == x;
            if i < p {
                assert(t[i] == x);
            } else {
                assert(t[i - 1] == s[i]);
            }
        }
    }
}

} // verus!
