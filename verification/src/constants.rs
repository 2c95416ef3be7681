//! Fixed-point constants for the play area and the core's tuning values.
//!
//! Every length is measured in sub-units: `UNIT` sub-units make one linear
//! unit of the original coordinate system (one screen pixel under the default
//! camera).

use vstd::prelude::*;

verus! {

/// Number of sub-units in one linear unit.
pub const UNIT: i64 = 1_000_000;

/// Width of the visible play area.
pub const VIEWPORT_WIDTH: i64 = 1920 * UNIT;

/// Height of the visible play area.
pub const VIEWPORT_HEIGHT: i64 = 1080 * UNIT;

/// Rightmost visible x coordinate.
pub const RIGHT: i64 = 960 * UNIT;

/// Leftmost visible x coordinate.
pub const LEFT: i64 = -RIGHT;

/// Topmost visible y coordinate.
pub const TOP: i64 = 540 * UNIT;

/// Bottommost visible y coordinate.
pub const BOTTOM: i64 = -TOP;

/// Speed of a player projectile, and of debris particles, in sub-units per second.
pub const PROJECTILE_SPEED: i64 = 450 * UNIT;

/// Side length used for projectile-sized sprites.
pub const PROJECTILE_SIZE: i64 = 30 * UNIT;

/// Speed of the player ship in sub-units per second.
pub const PADDLE_SPEED: i64 = 300 * UNIT;

/// Player sprite extents.
pub const PADDLE_SIZE_X: i64 = 120 * UNIT;

/// Player sprite extents.
pub const PADDLE_SIZE_Y: i64 = 20 * UNIT;

/// How close the player may get to the arena walls.
pub const PADDLE_PADDING: i64 = 10 * UNIT;

/// Vertical gap between the arena floor and the player spawn point.
pub const GAP_BETWEEN_PADDLE_AND_FLOOR: i64 = 60 * UNIT;

} // verus!
