//! Press and release events on the switch matrix.

use vstd::prelude::*;

verus! {

/// A change of one debounced switch, addressed by `(row, column)`.
#[derive(Clone, Copy, Debug, PartialEq, Eq, Structural)]
pub enum Event {
    /// The switch at `(row, column)` closed.
    Press(usize, usize),
    /// The switch at `(row, column)` opened.
    Release(usize, usize),
}

impl Event {
    /// The coordinate the event is about.
    pub open spec fn position(self) -> (usize, usize) {
        match self {
            Event::Press(row, col) => (row, col),
            Event::Release(row, col) => (row, col),
        }
    }

    /// Returns the `(row, column)` of the switch that changed.
    pub fn coord(self) -> (at: (usize, usize))
        ensures
            at == self.position(),
    {
        match self {
            Event::Press(row, col) => (row, col),
            Event::Release(row, col) => (row, col),
        }
    }

    /// Returns `true` for a press, `false` for a release.
    pub fn is_press(self) -> (pressed: bool)
        ensures
            pressed == (self is Press),
    {
        match self {
            Event::Press(_, _) => true,
            Event::Release(_, _) => false,
        }
    }
}

} // verus!
