//! What holds of the rule, of toggles and of the loop, for every live set.

use vstd::prelude::*;
use crate::cell::{Cell, in_grid};
use crate::game::{after_event, after_events, Button, Event, LoopState};
use crate::rule::{
    contained, drawn_alive, favourable, neighbours, next_generation, occupied, pending_cells,
    perturbed, settled, target, toggled, undecided, lemma_pending_lists,
};

verus! {

/// A toggle keeps the live set inside the grid.
pub proof fn lemma_toggle_contained(live: Set<Cell>, rows: usize, cols: usize, c: Cell)
    requires
        contained(live, rows, cols),
    ensures
        contained(toggled(live, rows, cols, c), rows, cols),
{
}

/// Two toggles of the same cell, one after the other, restore the live set.
pub proof fn lemma_toggle_twice(live: Set<Cell>, rows: usize, cols: usize, c: Cell)
    ensures
        toggled(toggled(live, rows, cols, c), rows, cols, c) == live,
{
    assert(toggled(toggled(live, rows, cols, c), rows, cols, c) =~= live);
}

/// A toggle at a coordinate outside the grid changes nothing.
pub proof fn lemma_toggle_outside(live: Set<Cell>, rows: usize, cols: usize, c: Cell)
    requires
        c.0 >= rows || c.1 >= cols,
    ensures
        toggled(live, rows, cols, c) == live,
{
}

/// The perturbation keeps the live set inside the grid.
pub proof fn lemma_perturbed_contained(
    live: Set<Cell>,
    rows: usize,
    cols: usize,
    picks: Seq<Cell>,
)
    requires
        contained(live, rows, cols),
    ensures
        contained(perturbed(live, rows, cols, picks), rows, cols),
    decreases picks.len(),
{
    if picks.len() > 0 && rows > 0 {
        lemma_perturbed_contained(live, rows, cols, picks.drop_last());
        lemma_toggle_contained(
            perturbed(live, rows, cols, picks.drop_last()),
            rows,
            cols,
            target(rows, picks.last()),
        );
    }
}

/// Every generation lies inside the grid, whatever came before it and
/// whatever was drawn.
pub proof fn lemma_generation_contained(
    live: Set<Cell>,
    rows: usize,
    cols: usize,
    draws: Seq<u8>,
    picks: Seq<Cell>,
)
    ensures
        contained(next_generation(live, rows, cols, draws, picks), rows, cols),
{
    lemma_perturbed_contained(settled(live, rows, cols, draws), rows, cols, picks);
}

/// The perturbation reaches the three leftmost columns only: a cell further
/// right is after it what it was before.
pub proof fn lemma_perturbation_confined(
    live: Set<Cell>,
    rows: usize,
    cols: usize,
    picks: Seq<Cell>,
    c: Cell,
)
    requires
        c.1 >= 3,
    ensures
        perturbed(live, rows, cols, picks).contains(c) == live.contains(c),
    decreases picks.len(),
{
    if picks.len() > 0 && rows > 0 {
        lemma_perturbation_confined(live, rows, cols, picks.drop_last(), c);
    }
}

/// The same live set on the same grid, with the same draws and the same picks,
/// gives the same generation.
pub proof fn lemma_generation_determined(
    a: Set<Cell>,
    b: Set<Cell>,
    rows: usize,
    cols: usize,
    draws: Seq<u8>,
    picks: Seq<Cell>,
)
    requires
        a =~= b,
    ensures
        next_generation(a, rows, cols, draws, picks) == next_generation(
            b,
            rows,
            cols,
            draws,
            picks,
        ),
{
}

/// Draws that no pending cell takes do not count: two runs of draws that
/// agree on as many draws as there are pending cells give the same generation.
pub proof fn lemma_spare_draws_ignored(
    live: Set<Cell>,
    rows: usize,
    cols: usize,
    d1: Seq<u8>,
    d2: Seq<u8>,
    picks: Seq<Cell>,
)
    requires
        d1.len() >= pending_cells(live, rows, cols).len(),
        d2.len() >= pending_cells(live, rows, cols).len(),
        forall|i: int| 0 <= i < pending_cells(live, rows, cols).len() ==> d1[i] == d2[i],
    ensures
        next_generation(live, rows, cols, d1, picks) == next_generation(
            live,
            rows,
            cols,
            d2,
            picks,
        ),
{
    let p = pending_cells(live, rows, cols);
    assert forall|c: Cell| drawn_alive(p, d1, c) == drawn_alive(p, d2, c) by {
        if drawn_alive(p, d1, c) {
            let i = choose|i: int|
                0 <= i < p.len() && i < d1.len() && #[trigger] p[i] == c && favourable(d1[i]);
            assert(p[i] == c && favourable(d2[i]));
        }
        if drawn_alive(p, d2, c) {
            let i = choose|i: int|
                0 <= i < p.len() && i < d2.len() && #[trigger] p[i] == c && favourable(d2[i]);
            assert(p[i] == c && favourable(d1[i]));
        }
    }
    assert(settled(live, rows, cols, d1) =~= settled(live, rows, cols, d2));
}

/// Where every draw is favourable and nothing is perturbed, a cell lives in
/// the next generation if and only if it lies in the grid and has two or three
/// live neighbours.
pub proof fn lemma_rule_all_favourable(
    live: Set<Cell>,
    rows: usize,
    cols: usize,
    draws: Seq<u8>,
    c: Cell,
)
    requires
        draws.len() >= pending_cells(live, rows, cols).len(),
        forall|i: int| 0 <= i < draws.len() ==> favourable(#[trigger] draws[i]),
    ensures
        next_generation(live, rows, cols, draws, Seq::empty()).contains(c) <==> (in_grid(
            c,
            rows,
            cols,
        ) && (neighbours(live, c) == 3 || neighbours(live, c) == 2)),
{
    let p = pending_cells(live, rows, cols);
    lemma_pending_lists(live, rows, cols);
    if in_grid(c, rows, cols) && neighbours(live, c) == 2 {
        assert(undecided(live, rows, cols).contains(c));
        assert(p.contains(c));
        let i = choose|i: int| 0 <= i < p.len() && p[i] == c;
        assert(p[i] == c && favourable(draws[i]));
        assert(drawn_alive(p, draws, c));
    }
    if drawn_alive(p, draws, c) {
        let i = choose|i: int|
            0 <= i < p.len() && i < draws.len() && #[trigger] p[i] == c && favourable(draws[i]);
        assert(p.contains(c));
        assert(undecided(live, rows, cols).contains(c));
    }
}

/// Where no draw is favourable and nothing is perturbed, a cell lives in the
/// next generation if and only if it lies in the grid and has exactly three
/// live neighbours.
pub proof fn lemma_rule_none_favourable(
    live: Set<Cell>,
    rows: usize,
    cols: usize,
    draws: Seq<u8>,
    c: Cell,
)
    requires
        forall|i: int| 0 <= i < draws.len() ==> !favourable(#[trigger] draws[i]),
    ensures
        next_generation(live, rows, cols, draws, Seq::empty()).contains(c) <==> (in_grid(
            c,
            rows,
            cols,
        ) && neighbours(live, c) == 3),
{
}

/// Whatever is drawn, a cell that lives after the rule has two or three live
/// neighbours, and a cell of the grid with three lives.
pub proof fn lemma_rule_bounds(live: Set<Cell>, rows: usize, cols: usize, draws: Seq<u8>, c: Cell)
    ensures
        settled(live, rows, cols, draws).contains(c) ==> in_grid(c, rows, cols) && (neighbours(
            live,
            c,
        ) == 2 || neighbours(live, c) == 3),
        in_grid(c, rows, cols) && neighbours(live, c) == 3 ==> settled(
            live,
            rows,
            cols,
            draws,
        ).contains(c),
{
    let p = pending_cells(live, rows, cols);
    lemma_pending_lists(live, rows, cols);
    if drawn_alive(p, draws, c) {
        let i = choose|i: int|
            0 <= i < p.len() && i < draws.len() && #[trigger] p[i] == c && favourable(draws[i]);
        assert(p.contains(c));
        assert(undecided(live, rows, cols).contains(c));
    }
}

/// No cell has more than eight live neighbours.
pub proof fn lemma_neighbours_at_most_eight(live: Set<Cell>, c: Cell)
    ensures
        neighbours(live, c) <= 8,
{
}

/// The grid does not wrap around: a cell in a corner of the grid has at most
/// three live neighbours.
pub proof fn lemma_corner_neighbours(live: Set<Cell>, rows: usize, cols: usize, c: Cell)
    requires
        contained(live, rows, cols),
        in_grid(c, rows, cols),
        c.0 == 0 || c.0 + 1 == rows,
        c.1 == 0 || c.1 + 1 == cols,
    ensures
        neighbours(live, c) <= 3,
{
    lemma_off_grid_dead(live, rows, cols, c);
}

/// The grid does not wrap around: a cell on an edge of the grid has at most
/// five live neighbours.
pub proof fn lemma_edge_neighbours(live: Set<Cell>, rows: usize, cols: usize, c: Cell)
    requires
        contained(live, rows, cols),
        in_grid(c, rows, cols),
        c.0 == 0 || c.0 + 1 == rows || c.1 == 0 || c.1 + 1 == cols,
    ensures
        neighbours(live, c) <= 5,
{
    lemma_off_grid_dead(live, rows, cols, c);
}

/// Around a cell, the sites beyond the last row or the last column hold no
/// live cell.
proof fn lemma_off_grid_dead(live: Set<Cell>, rows: usize, cols: usize, c: Cell)
    requires
        contained(live, rows, cols),
    ensures
        forall|r: int, k: int|
            (r >= rows || k >= cols) ==> !#[trigger] occupied(live, r, k),
{
    assert forall|r: int, k: int| (r >= rows || k >= cols) implies !#[trigger] occupied(
        live,
        r,
        k,
    ) by {
        if 0 <= r <= usize::MAX && 0 <= k <= usize::MAX {
            let x: Cell = (r as usize, k as usize);
            if live.contains(x) {
                assert(in_grid(x, rows, cols));
            }
        }
    }
}

/// The event is a press of the left mouse button.
pub open spec fn is_click(e: Event) -> bool {
    e matches Event::MouseButtonPressed { button: Button::Left, .. }
}

/// Events change the grid through clicks alone: a run of events without one
/// leaves the live set as it was.
pub proof fn lemma_only_clicks_toggle(
    s: LoopState,
    rows: usize,
    cols: usize,
    scale: usize,
    events: Seq<Event>,
)
    requires
        forall|i: int| 0 <= i < events.len() ==> !is_click(#[trigger] events[i]),
    ensures
        after_events(s, rows, cols, scale, events).live == s.live,
    decreases events.len(),
{
    if events.len() > 0 {
        lemma_only_clicks_toggle(s, rows, cols, scale, events.drop_last());
        assert(!is_click(events[events.len() - 1]));
    }
}

/// While the simulation runs, clicks are passed over: an event changes the
/// live set only where the simulation is paused.
pub proof fn lemma_running_ignores_clicks(
    s: LoopState,
    rows: usize,
    cols: usize,
    scale: usize,
    e: Event,
)
    requires
        !s.stopped,
    ensures
        after_event(s, rows, cols, scale, e).live == s.live,
{
}

/// Events keep the live set inside the grid.
pub proof fn lemma_events_contained(
    s: LoopState,
    rows: usize,
    cols: usize,
    scale: usize,
    events: Seq<Event>,
)
    requires
        contained(s.live, rows, cols),
    ensures
        contained(after_events(s, rows, cols, scale, events).live, rows, cols),
    decreases events.len(),
{
    if events.len() > 0 {
        lemma_events_contained(s, rows, cols, scale, events.drop_last());
    }
}

} // verus!
