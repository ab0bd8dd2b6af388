use vstd::prelude::*;
use crate::cell::{Board, OutOfRange, State};
use crate::screen::{cell_coord, grid_from_mouse};

verus! {

/// Nanoseconds that must pass between two generations while running.
pub const STEP_NANOS: u64 = 100_000_000;

/// What the user did, as the editor sees it.
#[derive(Clone, Copy, PartialEq, Eq, Structural, Debug)]
pub enum Input {
    /// Close the window.
    Quit,
    /// Pause a running simulation, or resume a paused one.
    TogglePause,
    /// Choose the state that drawing writes.
    SelectPen(State),
    /// The left button went down at pixel (x, y).
    Press(i32, i32),
    /// The left button went up.
    Release,
    /// The pointer moved to pixel (x, y).
    Motion(i32, i32),
}

/// The interactive state around a board: whether the simulation runs, whether
/// the left button is held, and which state drawing writes.
#[derive(Clone, Copy, PartialEq, Eq, Structural, Debug)]
pub struct Editor {
    pub paused: bool,
    pub drawing: bool,
    pub pen: State,
}

/// The cell under pixel (x, y), as `grid_from_mouse` finds it.
pub open spec fn cell_under(x: i32, y: i32) -> (int, int) {
    (cell_coord((x as usize) as int), cell_coord((y as usize) as int))
}

/// The pointer position that `input` carries, if any.
pub open spec fn pointer(input: Input) -> (i32, i32) {
    match input {
        Input::Press(x, y) => (x, y),
        Input::Motion(x, y) => (x, y),
        _ => (0, 0),
    }
}

/// The cell under the pointer position that `input` carries.
pub open spec fn target(input: Input) -> (int, int) {
    cell_under(pointer(input).0, pointer(input).1)
}

/// Whether `input` makes the editor write its pen at the cell under the pointer.
pub open spec fn paints(e: Editor, input: Input) -> bool {
    match input {
        Input::Press(_, _) => true,
        Input::Motion(_, _) => e.drawing,
        _ => false,
    }
}

/// The editor after `input`.
pub open spec fn next_editor(e: Editor, input: Input) -> Editor {
    match input {
        Input::TogglePause => Editor { paused: !e.paused, ..e },
        Input::SelectPen(s) => Editor { pen: s, ..e },
        Input::Press(_, _) => Editor { drawing: true, ..e },
        Input::Release => Editor { drawing: false, ..e },
        _ => e,
    }
}

impl Editor {
    /// A paused editor, not drawing, with `Wire` as its pen.
    pub fn new() -> (r: Editor)
        ensures
            r.paused,
            !r.drawing,
            r.pen == State::Wire,
    {
        Editor { paused: true, drawing: false, pen: State::Wire }
    }

    /// Applies one input. `Ok(false)` asks to quit and `Ok(true)` to go on. A
    /// press, or a motion while the button is held, writes the pen at the cell
    /// under the pointer; where that cell is off the board the board is left
    /// as it was and the error is returned.
    pub fn handle(&mut self, board: &mut Board, input: Input) -> (r: Result<bool, OutOfRange>)
        ensures
            *final(self) == next_editor(*old(self), input),
            r == Ok::<bool, OutOfRange>(false) <==> input == Input::Quit,
            r is Err <==> paints(*old(self), input) && !old(board).in_bounds(target(input).0, target(input).1),
            final(board).spec_width() == old(board).spec_width(),
            final(board).spec_height() == old(board).spec_height(),
            forall|i: int, j: int| #[trigger]
                final(board).cell(i, j) == if paints(*old(self), input) && old(board).in_bounds(i, j)
                    && (i, j) == target(input) {
                    old(self).pen
                } else {
                    old(board).cell(i, j)
                },
    {
        match input {
            Input::Quit => Ok(false),
            Input::TogglePause => {
                self.paused = !self.paused;
                Ok(true)
            },
            Input::SelectPen(s) => {
                self.pen = s;
                Ok(true)
            },
            Input::Press(x, y) => {
                self.drawing = true;
                let (cx, cy) = grid_from_mouse(x, y);
                match board.set(cx, cy, self.pen) {
                    Ok(()) => Ok(true),
                    Err(e) => Err(e),
                }
            },
            Input::Release => {
                self.drawing = false;
                Ok(true)
            },
            Input::Motion(x, y) => {
                if self.drawing {
                    let (cx, cy) = grid_from_mouse(x, y);
                    match board.set(cx, cy, self.pen) {
                        Ok(()) => Ok(true),
                        Err(e) => Err(e),
                    }
                } else {
                    Ok(true)
                }
            },
        }
    }

    /// Whether a generation is due: the simulation runs and more than
    /// `STEP_NANOS` have passed since the last one.
    pub fn should_advance(&self, elapsed_nanos: u64) -> (r: bool)
        ensures
            r == (!self.paused && elapsed_nanos > STEP_NANOS),
    {
        !self.paused && elapsed_nanos > STEP_NANOS
    }

    /// Advances `board` by one generation when one is due after
    /// `elapsed_nanos`, and says whether it did; otherwise the board stays as
    /// it was.
    pub fn update(&self, board: &mut Board, elapsed_nanos: u64) -> (r: bool)
        ensures
            r == (!self.paused && elapsed_nanos > STEP_NANOS),
            r ==> old(board).steps_to(*final(board)),
            !r ==> *final(board) == *old(board),
    {
        if self.should_advance(elapsed_nanos) {
            board.advance_generation();
            true
        } else {
            false
        }
    }
}

} // verus!
