//! Presentation-side scrolling state: the background wrap rule.

use vstd::prelude::*;
use crate::constants::{UNIT, TOP, BOTTOM, VIEWPORT_WIDTH};
use crate::geom::POS_LIMIT;

verus! {

/// The graphics subsystem; rendering itself lives outside the core.
pub struct GraphicsPlugin;

/// The background tile's y coordinate after one scroll step: it moves down
/// five units and wraps back to the top once a full tile height below the
/// floor.
pub open spec fn move_background_spec(y: int) -> int {
    if y - 5 * (UNIT as int) < (BOTTOM as int) - (VIEWPORT_WIDTH as int) {
        TOP as int
    } else {
        y - 5 * (UNIT as int)
    }
}

/// Scroll one background tile down, wrapping to the top below the floor.
pub fn move_background(y: &mut i64)
    requires
        -POS_LIMIT <= *old(y) <= POS_LIMIT,
    ensures
        *final(y) == move_background_spec(*old(y) as int),
        -POS_LIMIT <= *final(y) <= POS_LIMIT,
{
    let moved = *y - 5 * UNIT;
    if moved < BOTTOM - VIEWPORT_WIDTH {
        *y = TOP;
    } else {
        *y = moved;
    }
}

} // verus!
