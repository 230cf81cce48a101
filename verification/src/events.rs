use vstd::prelude::*;

verus! {

/// Notification that the entity with the given store index was translated by
/// one cell during push resolution.
#[derive(Clone, Copy, PartialEq, Eq, Structural, Debug)]
pub struct EntityMoved {
    pub entity: usize,
}

/// A typed notification, produced by the push resolver and consumed once per
/// tick by the event dispatcher.
#[derive(Clone, Copy, PartialEq, Eq, Structural, Debug)]
pub enum Event {
    EntityMoved(EntityMoved),
    PlayerHitObstacle,
}

} // verus!
