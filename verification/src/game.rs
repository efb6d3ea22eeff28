use crate::cell_map::CellMap;
use crate::grid_state::GridState;
use crate::screen::{cell_coordinate, pointer_to_cell, ORIGIN_X, ORIGIN_Y};
use vstd::prelude::*;

verus! {

/// What the player did, as far as the game cares.
#[derive(Clone, Copy, Debug, PartialEq, Eq, Structural)]
pub enum Input {
    /// The window was closed.
    Quit,
    /// The escape key went down.
    Escape,
    /// The left button was released with the pointer at `(x, y)`.
    LeftClick { x: i32, y: i32 },
    /// The right button was released with the pointer at `(x, y)`.
    RightClick { x: i32, y: i32 },
    /// Anything else.
    Other,
}

/// Whether the game goes on.
#[derive(Clone, Copy, Debug, PartialEq, Eq, Structural)]
pub enum Flow {
    Continue,
    Stop,
}

/// Whether `after` may be what `input` leaves of the grid `before`: a left click reveals
/// and a right click toggles the flag, both at the cell under the pointer, and nothing
/// else touches the grid.
pub open spec fn input_outcome(before: GridState, input: Input, after: GridState) -> bool {
    match input {
        Input::LeftClick { x, y } => before.reveal_outcome(
            cell_coordinate(x as int, ORIGIN_X as int),
            cell_coordinate(y as int, ORIGIN_Y as int),
            after,
        ),
        Input::RightClick { x, y } => after == before.flag_toggled(
            cell_coordinate(x as int, ORIGIN_X as int),
            cell_coordinate(y as int, ORIGIN_Y as int),
        ),
        _ => after == before,
    }
}

/// Reveals at the cell under the pointer at `(x, y)`.
pub fn handle_left_click(cell_map: &mut CellMap, x: i32, y: i32)
    requires
        old(cell_map)@.wf(),
    ensures
        final(cell_map)@.wf(),
        input_outcome(old(cell_map)@, Input::LeftClick { x, y }, final(cell_map)@),
{
    let (x, y) = pointer_to_cell(x, y);
    cell_map.reveal_cell(x, y);
}

/// Toggles the flag of the cell under the pointer at `(x, y)`.
pub fn handle_right_click(cell_map: &mut CellMap, x: i32, y: i32)
    requires
        old(cell_map)@.wf(),
    ensures
        final(cell_map)@.wf(),
        input_outcome(old(cell_map)@, Input::RightClick { x, y }, final(cell_map)@),
{
    let (x, y) = pointer_to_cell(x, y);
    cell_map.flag_cell(x, y);
}

/// One step of the game: what `input` does to the grid, and whether the game goes on.
/// It stops when the window is closed or the escape key goes down.
pub fn handle_input(cell_map: &mut CellMap, input: Input) -> (flow: Flow)
    requires
        old(cell_map)@.wf(),
    ensures
        final(cell_map)@.wf(),
        input_outcome(old(cell_map)@, input, final(cell_map)@),
        flow == Flow::Stop <==> input == Input::Quit || input == Input::Escape,
{
    match input {
        Input::Quit | Input::Escape => Flow::Stop,
        Input::LeftClick { x, y } => {
            handle_left_click(cell_map, x, y);
            Flow::Continue
        },
        Input::RightClick { x, y } => {
            handle_right_click(cell_map, x, y);
            Flow::Continue
        },
        Input::Other => Flow::Continue,
    }
}

} // verus!
