//! The loop around the engine: what each input event does, and what one frame
//! does to the grid.

use vstd::prelude::*;
use crate::cell::Cell;
use crate::matrix::Matrix;
use crate::rule::{next_generation, toggled};

verus! {

/// The keys that the loop tells apart.
#[derive(Clone, Copy, Debug, PartialEq, Eq)]
pub enum Key {
    Escape,
    Return,
    Other,
}

/// The mouse buttons that the loop tells apart.
#[derive(Clone, Copy, Debug, PartialEq, Eq)]
pub enum Button {
    Left,
    Other,
}

/// An input event, as the window hands it over. A press of a mouse button
/// carries the pointer's place on the drawing surface, in pixels.
#[derive(Clone, Copy, Debug, PartialEq, Eq)]
pub enum Event {
    Closed,
    KeyPressed { code: Key },
    MouseButtonPressed { button: Button, x: i32, y: i32 },
    Other,
}

/// What the loop knows: the live cells, whether it keeps running, and whether
/// the simulation is paused.
pub ghost struct LoopState {
    pub live: Set<Cell>,
    pub running: bool,
    pub stopped: bool,
}

/// The cell under the pixel `(x, y)` at `scale` pixels per cell: the row comes
/// from `y`, the column from `x`. There is none left of or above the surface,
/// nor at scale zero.
pub open spec fn cell_under(scale: usize, x: i32, y: i32) -> Option<Cell> {
    if scale > 0 && x >= 0 && y >= 0 {
        Some(((y as int / scale as int) as usize, (x as int / scale as int) as usize))
    } else {
        None
    }
}

/// The state after one event. Closing the window or pressing escape ends the
/// loop, return pauses or resumes, and a left click toggles the cell under the
/// pointer while the simulation is paused. Anything else is passed over.
pub open spec fn after_event(
    s: LoopState,
    rows: usize,
    cols: usize,
    scale: usize,
    e: Event,
) -> LoopState {
    match e {
        Event::Closed => LoopState { running: false, ..s },
        Event::KeyPressed { code: Key::Escape } => LoopState { running: false, ..s },
        Event::KeyPressed { code: Key::Return } => LoopState { stopped: !s.stopped, ..s },
        Event::MouseButtonPressed { button: Button::Left, x, y } => {
            if s.stopped && cell_under(scale, x, y) is Some {
                LoopState { live: toggled(s.live, rows, cols, cell_under(scale, x, y)->Some_0), ..s }
            } else {
                s
            }
        },
        _ => s,
    }
}

/// The state after a run of events, taken in order.
pub open spec fn after_events(
    s: LoopState,
    rows: usize,
    cols: usize,
    scale: usize,
    events: Seq<Event>,
) -> LoopState
    decreases events.len(),
{
    if events.len() == 0 {
        s
    } else {
        after_event(
            after_events(s, rows, cols, scale, events.drop_last()),
            rows,
            cols,
            scale,
            events.last(),
        )
    }
}

/// Finds the cell under a pixel.
pub fn locate(scale: usize, x: i32, y: i32) -> (c: Option<Cell>)
    ensures
        c == cell_under(scale, x, y),
{
    if scale > 0 && x >= 0 && y >= 0 {
        Some(((y as usize) / scale, (x as usize) / scale))
    } else {
        None
    }
}

/// The length in pixels of `n` cells at `scale` pixels each, where it fits a
/// window's dimension.
pub open spec fn span_of(scale: usize, n: usize) -> Option<u32> {
    if scale * n <= u32::MAX {
        Some((scale * n) as u32)
    } else {
        None
    }
}

/// Computes the length in pixels of `n` cells.
pub fn span(scale: usize, n: usize) -> (r: Option<u32>)
    ensures
        r == span_of(scale, n),
{
    if scale == 0 || n == 0 {
        assert(scale * n == 0) by (nonlinear_arith)
            requires
                scale == 0 || n == 0,
        ;
        Some(0)
    } else if scale > 4294967295 / n {
        assert(scale * n > 4294967295) by (nonlinear_arith)
            requires
                n > 0,
                scale > 4294967295int / (n as int),
        ;
        None
    } else {
        assert(scale * n <= 4294967295) by (nonlinear_arith)
            requires
                n > 0,
                scale <= 4294967295int / (n as int),
        ;
        Some((scale * n) as u32)
    }
}

/// The engine with the two flags of the loop.
pub struct Game {
    map: Matrix,
    running: bool,
    stopped: bool,
}

impl View for Game {
    type V = LoopState;

    closed spec fn view(&self) -> LoopState {
        LoopState { live: self.map@, running: self.running, stopped: self.stopped }
    }
}

impl Game {
    /// The grid is well-formed.
    pub closed spec fn wf(&self) -> bool {
        self.map.wf()
    }

    /// The grid.
    pub closed spec fn spec_map(&self) -> &Matrix {
        &self.map
    }

    /// The live set is that of the grid.
    pub proof fn lemma_view(&self)
        ensures
            self@.live == self.spec_map()@,
            self.wf() == self.spec_map().wf(),
    {
    }

    /// A game on an empty grid: running, and paused until return is pressed.
    pub fn new(rows: usize, cols: usize, scale: usize) -> (g: Game)
        ensures
            g.wf(),
            g.spec_map().rows() == rows,
            g.spec_map().cols() == cols,
            g.spec_map().scale() == scale,
            g@ == (LoopState { live: Set::<Cell>::empty(), running: true, stopped: true }),
    {
        Game { map: Matrix::new((rows, cols, scale)), running: true, stopped: true }
    }

    /// The grid, for whoever paints it.
    #[verifier::when_used_as_spec(spec_map)]
    pub fn map(&self) -> (m: &Matrix)
        ensures
            m == self.spec_map(),
    {
        &self.map
    }

    /// The size in pixels of a window that shows the whole grid, width first:
    /// the columns run along the width, the rows along the height. There is
    /// none where a side does not fit a window's dimension.
    pub fn window_size(&self) -> (r: Option<(u32, u32)>)
        ensures
            r == match (
                span_of(self.map().scale(), self.map().cols()),
                span_of(self.map().scale(), self.map().rows()),
            ) {
                (Some(w), Some(h)) => Some((w, h)),
                _ => None,
            },
    {
        match (span(self.map.scale(), self.map.cols()), span(self.map.scale(), self.map.rows())) {
            (Some(w), Some(h)) => Some((w, h)),
            _ => None,
        }
    }

    /// Whether the loop goes on.
    pub fn running(&self) -> (b: bool)
        ensures
            b == self@.running,
    {
        self.running
    }

    /// Whether the simulation is paused.
    pub fn stopped(&self) -> (b: bool)
        ensures
            b == self@.stopped,
    {
        self.stopped
    }

    /// Applies one input event.
    pub fn manage_event(&mut self, event: Event)
        requires
            old(self).wf(),
        ensures
            final(self).wf(),
            final(self).map().same_frame(old(self).map()),
            final(self)@ == after_event(
                old(self)@,
                old(self).map().rows(),
                old(self).map().cols(),
                old(self).map().scale(),
                event,
            ),
    {
        match event {
            Event::Closed => {
                self.running = false;
            },
            Event::KeyPressed { code } => {
                match code {
                    Key::Escape => {
                        self.running = false;
                    },
                    Key::Return => {
                        self.stopped = !self.stopped;
                    },
                    Key::Other => {},
                }
            },
            Event::MouseButtonPressed { button, x, y } => {
                if self.stopped {
                    match button {
                        Button::Left => {
                            match locate(self.map.scale(), x, y) {
                                Some(c) => {
                                    self.map.change_state(c.0, c.1);
                                },
                                None => {},
                            }
                        },
                        Button::Other => {},
                    }
                }
            },
            Event::Other => {},
        }
    }

    /// Applies the events of one frame, in order.
    pub fn manage_events(&mut self, events: &Vec<Event>)
        requires
            old(self).wf(),
        ensures
            final(self).wf(),
            final(self).map().same_frame(old(self).map()),
            final(self)@ == after_events(
                old(self)@,
                old(self).map().rows(),
                old(self).map().cols(),
                old(self).map().scale(),
                events@,
            ),
    {
        let n: usize = events.len();
        let mut i: usize = 0;
        proof {
            assert(events@.take(0) =~= Seq::<Event>::empty());
        }
        while i < n
            invariant
                self.wf(),
                self.map().same_frame(old(self).map()),
                i <= n == events@.len(),
                self@ == after_events(
                    old(self)@,
                    old(self).map().rows(),
                    old(self).map().cols(),
                    old(self).map().scale(),
                    events@.take(i as int),
                ),
            decreases n - i,
        {
            proof {
                assert(events@.take(i + 1).drop_last() =~= events@.take(i as int));
                assert(events@.take(i + 1).last() == events@[i as int]);
            }
            self.manage_event(events[i]);
            i += 1;
        }
        proof {
            assert(events@.take(n as int) =~= events@);
        }
    }

    /// One frame with the given randomness: the events, then one generation
    /// unless the simulation is paused.
    pub fn update_with(&mut self, events: &Vec<Event>, draws: &Vec<u8>, picks: &Vec<Cell>)
        requires
            old(self).wf(),
        ensures
            final(self).wf(),
            final(self).map().same_frame(old(self).map()),
            ({
                let m = old(self).map();
                let s = after_events(old(self)@, m.rows(), m.cols(), m.scale(), events@);
                final(self)@ == if s.stopped {
                    s
                } else {
                    LoopState {
                        live: next_generation(s.live, m.rows(), m.cols(), draws@, picks@),
                        ..s
                    }
                }
            }),
    {
        self.manage_events(events);
        if !self.stopped {
            self.map.advance_with(draws, picks);
        }
    }

    /// One frame: the events, then one generation with randomness of its own
    /// unless the simulation is paused. While it is paused, only the events
    /// change the grid.
    pub fn update(&mut self, events: &Vec<Event>)
        requires
            old(self).wf(),
        ensures
            final(self).wf(),
            final(self).map().same_frame(old(self).map()),
            ({
                let m = old(self).map();
                let s = after_events(old(self)@, m.rows(), m.cols(), m.scale(), events@);
                &&& final(self)@.running == s.running
                &&& final(self)@.stopped == s.stopped
                &&& s.stopped ==> final(self)@.live == s.live
                &&& !s.stopped ==> exists|draws: Seq<u8>, picks: Seq<Cell>|
                    picks.len() <= 255 && final(self)@.live == #[trigger] next_generation(
                        s.live,
                        m.rows(),
                        m.cols(),
                        draws,
                        picks,
                    )
            }),
    {
        self.manage_events(events);
        if !self.stopped {
            let ghost before = self.map;
            self.map.update();
            proof {
                let (draws, picks) = choose|draws: Seq<u8>, picks: Seq<Cell>|
                    picks.len() <= 255 && self.map@ == #[trigger] next_generation(
                        before@,
                        before.rows(),
                        before.cols(),
                        draws,
                        picks,
                    );
                assert(self@.live == next_generation(
                    before@,
                    old(self).map().rows(),
                    old(self).map().cols(),
                    draws,
                    picks,
                ));
            }
        }
    }
}

} // verus!
