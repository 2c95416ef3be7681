//! Weapon loadout descriptions: tuning data for future armament systems.

use vstd::prelude::*;

verus! {

/// How a weapon releases its projectiles.
#[derive(Clone, Copy, Debug, PartialEq, Eq, Structural)]
pub enum ProjectileType {
    /// One projectile straight ahead.
    Single,
    /// A fan of projectiles spread over the given angle, in sub-radians
    /// (`UNIT` sub-radians per radian).
    Fan(i64),
    /// A burst fired in quick succession.
    Burst,
}

/// A weapon's tuning values, in sub-unit fixed point.
#[derive(Clone, Debug)]
pub struct Weapon {
    /// Display name.
    pub name: String,
    /// Minimum time between shots, in sub-seconds.
    pub fire_rate: i64,
    /// Damage per projectile.
    pub damage: i64,
    /// Projectile speed in sub-units per second.
    pub projectile_speed: i64,
    /// Release pattern.
    pub projectile_type: ProjectileType,
    /// Projectiles released per shot.
    pub projectiles_per_shot: usize,
}

} // verus!
