use vstd::prelude::*;
use rltk::Point;
use crate::storage::Entity;

verus! {

/// Request to attack `target` hand to hand.
#[derive(Clone, Copy, Debug, PartialEq, Eq, Structural)]
pub struct WantsToMelee {
    pub target: Entity,
}

/// Request of `collected_by` to take `item` from the floor.
#[derive(Clone, Copy, Debug, PartialEq, Eq, Structural)]
pub struct WantsToPickupItem {
    pub collected_by: Entity,
    pub item: Entity,
}

/// Request to use `item`, on the user or on the tile `target`.
#[derive(Clone, Copy, Debug, PartialEq, Eq)]
pub struct WantsToUseItem {
    pub item: Entity,
    pub target: Option<Point>,
}

/// Request to put `item` on the floor.
#[derive(Clone, Copy, Debug, PartialEq, Eq, Structural)]
pub struct WantsToDropItem {
    pub item: Entity,
}

/// Request to take off `item`.
#[derive(Clone, Copy, Debug, PartialEq, Eq, Structural)]
pub struct WantsToRemoveItem {
    pub item: Entity,
}

} // verus!
