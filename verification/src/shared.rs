//! Components shared across the combat pipeline.

use vstd::prelude::*;

verus! {

/// Hit points of a combat entity.  The resolution pipeline keeps stored
/// health strictly positive: the lethal hit tombstones the entity instead of
/// writing a zero.
#[derive(Clone, Copy, Debug, PartialEq, Eq, Structural)]
pub struct Health(pub i32);

/// Tombstone marker: the entity is logically dead and awaits removal by the
/// cleanup sweep.
#[derive(Clone, Copy, Debug, PartialEq, Eq, Structural, Default)]
pub struct Dead;

impl Health {
    /// Decrement the stored health by one.
    pub fn dec(&mut self)
        requires
            old(self).0 > i32::MIN,
        ensures
            final(self).0 == old(self).0 - 1,
    {
        self.0 = self.0 - 1;
    }
}

} // verus!
