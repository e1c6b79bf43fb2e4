//! The measures of the window and of the playfield inside it.

use vstd::prelude::*;

verus! {

/// The width of the window.
pub const WINDOW_W: i64 = 800_000_000;

/// The height of the window.
pub const WINDOW_H: i64 = 600_000_000;

/// The margin between the window and the playfield, on every side.
pub const WINDOW_PADDING: i64 = 40_000_000;

/// The width of the playfield: the window without its margins.
pub const VIEW_W: i64 = 720_000_000;

/// The height of the playfield: the window without its margins.
pub const VIEW_H: i64 = 520_000_000;

/// How far inside an edge an entity is put that reached it, and by how much a
/// circle's way out of a rectangle exceeds its depth in it.
pub const DISP_FUDGE: i64 = 5_000_000;

} // verus!
