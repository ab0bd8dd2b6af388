//! A Wireworld cellular automaton: cell states, the transition rule, and a
//! board that advances all of its cells in one synchronous step (`cell`);
//! drawing a board into a pixel frame and mapping the pointer to cells
//! (`screen`); and the decisions of an interactive editor around a board
//! (`editor`).

pub mod cell;
pub mod screen;
pub mod editor;
