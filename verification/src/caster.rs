//! Grid lookups of the raycaster, and the wall faces rays hit.
use vstd::prelude::*;

use crate::maze::Maze;

verus! {

/// Number of rays the 2D view casts across the field of view.
pub const NUM_RAYS_2D: usize = 60;

/// Which face of a wall cell a ray hit: a vertical face (crossing a column
/// boundary) or a horizontal one (crossing a row boundary).
#[derive(Debug, Clone, Copy, PartialEq, Eq)]
pub enum WallSide {
    Vertical,
    Horizontal,
}

/// The cell at column `column`, row `row`, or `None` outside the grid.
pub fn cell_at_grid_position(maze: &Maze, column: isize, row: isize) -> (cell: Option<char>)
    ensures
        cell == (if 0 <= row < maze@.len() && 0 <= column < maze@[row as int]@.len() {
            Some(maze@[row as int]@[column as int])
        } else {
            None::<char>
        }),
{
    if column < 0 || row < 0 {
        return None;
    }
    let r = row as usize;
    let c = column as usize;
    if r < maze.len() && c < maze[r].len() {
        Some(maze[r][c])
    } else {
        None
    }
}

} // verus!
